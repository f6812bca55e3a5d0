//! Core of a multi-turn chat service: a conversation store with atomic
//! two-message appends, an orchestrator that validates access, assembles
//! history and relays a stream of model-output increments, and the pure
//! parts of the completion-backend adapter (URL normalization, request
//! framing, and classification of incremental events).

pub mod adapter;
pub mod catalog;
pub mod dto;
pub mod error;
pub mod jsonval;
pub mod model;
pub mod service;
pub mod store;
pub mod text;
