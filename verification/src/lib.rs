//! An election and jurisdiction ledger: participants register, administrations
//! form a geofenced hierarchy and issue time-boxed elections, and participants
//! vote once per election.
//!
//! The ledger itself is [`schema::ElectionSchema`]; what it holds and what
//! holds of it is said over its mathematical content,
//! [`schema::view::SchemaView`]. Transactions are answered by the handlers of
//! [`service::ElectionService`] in [`tx_behavior`], queries by
//! [`api::PublicApi`]. What holds whatever the transactions are is stated
//! and proved in [`laws`].

pub mod api;
pub mod cli;
pub mod constant;
pub mod crypto;
pub mod error;
pub mod laws;
pub mod model;
pub mod schema;
pub mod service;
pub mod tx_behavior;
