//! Shape-classification pipeline: a fixed response schema, a tolerant parser
//! for model replies, a pure classification step, and a thread-safe single-slot
//! store that hands the latest outcome from an asynchronous producer to a
//! polling consumer.
//!
//! The network transport that actually reaches a model endpoint is left to the
//! caller: the library states what the reply text must look like
//! ([`schema::schema_description`]), decodes whatever came back
//! ([`parser::parse`], [`client::classify_reply`]), and synchronises the
//! outcome ([`store::ResultStore`], [`dispatch::RequestDispatcher`]).

pub mod client;
pub mod dispatch;
pub mod error;
pub mod grammar;
pub mod laws;
pub mod parser;
pub mod schema;
pub mod store;
