//! Core of a federated chat server node: the room state snapshot engine with
//! its visibility rules, and the outbound federation queue with destination
//! discovery.
//!
//! The library does no input or output. Where outside work is needed (a
//! name lookup, a fetch, a write to durable storage) it says what is to be
//! done, and takes the outcome as a plain value.

pub mod bytes;
pub mod destination;
pub mod error;
pub mod filter;
pub mod json;
pub mod lru;
pub mod moderation;
pub mod name_map;
pub mod resolver;
pub mod send;
pub mod sender;
pub mod sending;
pub mod service;
pub mod snapshot;
pub mod state_accessor;
pub mod state_diff;
pub mod string;
