//! Romp: the frame layer of a simple STOMP server.
//!
//! `stomp` holds the frame model (commands, headers, frames), their wire
//! text and a byte-at-a-time frame parser; `client` holds the decisions a
//! server makes when it answers a client's frames.
pub mod client;
pub mod stomp;
